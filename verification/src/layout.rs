//! Sizes, alignments and offsets of types in memory.
//!
//! [`measure`] says what the layout of a type is. It is `Unsized` for a type
//! without a layout of its own, such as an array of unknown length, and `TooBig`
//! where an offset would not fit in 64 bits.
use vstd::prelude::*;

use crate::types::{
    ArrayLen, FieldInfo, IntBits, Type, TypeArena, TypeId, UnionTagKind, UnionVariant,
};

verus! {

/// The size and alignment of a type, in bytes.
#[derive(Clone, Copy, PartialEq, Eq, Structural, Debug)]
pub struct Layout {
    /// The size.
    pub size: u64,
    /// The alignment: a power of two.
    pub align: u64,
}

impl Layout {
    /// The layout of a machine word, which also stands in for a type without one.
    pub open spec fn word() -> Layout {
        Layout { size: 8, align: 8 }
    }

    /// The layout of a machine word, which also stands in for a type without one.
    #[allow(non_snake_case)]
    pub fn WORD() -> (r: Layout)
        ensures
            r == Layout::word(),
    {
        Layout { size: 8, align: 8 }
    }
}

/// The result of measuring a type.
#[derive(Clone, Copy, PartialEq, Eq, Structural, Debug)]
pub enum Measure {
    /// A layout.
    Known(Layout),
    /// No layout.
    Unsized,
    /// A size or offset above 64 bits.
    TooBig,
}

/// Whether `a` is a power of two.
pub open spec fn is_pow2(a: int) -> bool
    decreases a,
{
    if a <= 0 {
        false
    } else if a == 1 {
        true
    } else {
        a % 2 == 0 && is_pow2(a / 2)
    }
}

/// `x` rounded up to a multiple of `a`; `x` itself for `a` up to 1.
pub open spec fn up(x: int, a: int) -> int {
    if a <= 1 {
        x
    } else {
        (x + a - 1) / a * a
    }
}

/// The greater of two.
pub open spec fn max(a: int, b: int) -> int {
    if a >= b {
        a
    } else {
        b
    }
}

/// The least power of two from `p` on, by doubling, that is not below `n`.
pub open spec fn pow2_from(p: int, n: int) -> int
    decreases max(n - p, 0),
{
    if p >= n || p <= 0 {
        p
    } else {
        pow2_from(2 * p, n)
    }
}

/// The least power of two that is not below `n`.
pub open spec fn pow2_ceil(n: int) -> int {
    pow2_from(1, n)
}

/// The bytes of an integer: its bits in whole bytes, up to a power of two.
pub open spec fn int_bytes(bits: IntBits) -> int {
    match bits {
        IntBits::Usize | IntBits::Isize => 8,
        IntBits::Fixed(n) => if n == 0 {
            0
        } else {
            pow2_ceil((n + 7) / 8)
        },
    }
}

/// How many bits `n` takes.
pub open spec fn bit_len(n: int) -> int
    decreases n,
{
    if n <= 0 {
        0
    } else {
        1 + bit_len(n / 2)
    }
}

/// The bits of a tag that tells `n` variants apart: `max(1, ceil(log2(n)))`.
pub open spec fn tag_bits(n: int) -> int {
    if n <= 2 {
        1
    } else {
        bit_len(n - 1)
    }
}

/// A layout, where size and alignment fit.
pub open spec fn known(size: int, align: int) -> Measure {
    if 0 <= size <= u64::MAX && 0 <= align <= u64::MAX {
        Measure::Known(Layout { size: size as u64, align: align as u64 })
    } else {
        Measure::TooBig
    }
}

/// Whether rounding `x` up to `a` stays within 64 bits.
pub open spec fn up_fits(x: int, a: int) -> bool {
    x <= u64::MAX && (a <= 1 || x + a - 1 <= u64::MAX)
}

/// The tag of a union with `n` variants.
pub open spec fn tag_layout(tag: UnionTagKind, n: int) -> Layout {
    match tag {
        UnionTagKind::Untagged => Layout { size: 0, align: 1 },
        _ => Layout {
            size: int_bytes(IntBits::Fixed(tag_bits(n) as u16)) as u64,
            align: max(int_bytes(IntBits::Fixed(tag_bits(n) as u16)), 1) as u64,
        },
    }
}

/// The payload area of a union: as large as the largest variant, as aligned as
/// the strictest.
pub struct Area {
    pub size: int,
    pub align: int,
}

/// An optional around a payload of layout `l`: the payload, then a flag byte.
pub open spec fn optional_layout(l: Layout) -> Measure {
    let align = max(l.align as int, 1);
    if up_fits(l.size + 1, align) {
        known(up(l.size + 1, align), align)
    } else {
        Measure::TooBig
    }
}

/// An error union around a payload of layout `l`: a two-byte tag, then the
/// payload at its alignment.
pub open spec fn error_union_layout(l: Layout) -> Measure {
    let align = max(l.align as int, 2);
    let end = up(2, max(l.align as int, 1)) + l.size;
    if up_fits(2, max(l.align as int, 1)) && up_fits(end, align) {
        known(up(end, align), align)
    } else {
        Measure::TooBig
    }
}

/// `n` elements of layout `l` in a row, the size saturating.
pub open spec fn array_layout(l: Layout, n: int) -> Measure {
    known(
        if l.size * n <= u64::MAX {
            l.size * n
        } else {
            u64::MAX as int
        },
        max(l.align as int, 1),
    )
}

/// `n` lanes of layout `l`: aligned to their size up to a power of two, at most 16.
pub open spec fn vector_layout(l: Layout, n: int) -> Measure {
    let raw = if l.size * n <= u64::MAX {
        l.size * n
    } else {
        u64::MAX as int
    };
    let align: int = if raw > 8 {
        16
    } else {
        pow2_ceil(max(raw, 1))
    };
    if raw <= 0x8000_0000_0000_0000 && up_fits(raw, align) {
        known(up(raw, align), align)
    } else {
        Measure::TooBig
    }
}

/// The layout of a type; types nested deeper than 64 have none.
pub open spec fn measure(arena: TypeArena, ty: TypeId, depth: int) -> Measure
    decreases 65 - depth, 0int,
{
    if depth > 64 || depth < 0 {
        Measure::Unsized
    } else {
        match arena.at(ty) {
            Type::Int { bits, .. } => known(int_bytes(bits), max(int_bytes(bits), 1)),
            Type::Float { width } => known(
                pow2_ceil((width + 7) / 8),
                pow2_ceil((width + 7) / 8),
            ),
            Type::Bool => known(1, 1),
            Type::Void | Type::NoReturn => known(0, 1),
            Type::Pointer { .. } | Type::Opaque(_) | Type::AnyOpaque => known(8, 8),
            Type::Slice { .. } => known(16, 8),
            Type::Optional(inner) => match measure(arena, inner, depth + 1) {
                Measure::Known(l) => if arena.at(inner) is Pointer {
                    Measure::Known(l)
                } else {
                    optional_layout(l)
                },
                m => m,
            },
            Type::ErrorUnion { ok } => match measure(arena, ok, depth + 1) {
                Measure::Known(l) => error_union_layout(l),
                m => m,
            },
            Type::Array { len, elem } => match len {
                ArrayLen::Known(n) => match measure(arena, elem, depth + 1) {
                    Measure::Known(l) => array_layout(l, n as int),
                    m => m,
                },
                _ => Measure::Unsized,
            },
            Type::Vector { lanes, elem } => match measure(arena, elem, depth + 1) {
                Measure::Known(l) => vector_layout(l, lanes as int),
                m => m,
            },
            Type::Struct(id) => measure_fields(
                arena,
                arena.structs@[id.0 as int].fields@,
                0,
                depth + 1,
                0,
                1,
            ),
            Type::Enum(id) => measure(arena, arena.enums@[id.0 as int].tag, depth + 1),
            Type::Union(id) => {
                let info = arena.unions@[id.0 as int];
                measure_variants(
                    arena,
                    info.variants@,
                    0,
                    depth + 1,
                    Area { size: 0, align: 1 },
                    tag_layout(info.tag, info.variants@.len() as int),
                )
            },
            _ => Measure::Unsized,
        }
    }
}

/// The layout of a struct from its field `i` on: each field behind the one
/// before at its own alignment, the whole rounded up to the strictest.
pub open spec fn measure_fields(
    arena: TypeArena,
    fields: Seq<FieldInfo>,
    i: int,
    depth: int,
    offset: int,
    align: int,
) -> Measure
    decreases 65 - depth, 1 + fields.len() - i,
{
    if i < 0 || i >= fields.len() {
        if up_fits(offset, align) {
            known(up(offset, align), align)
        } else {
            Measure::TooBig
        }
    } else {
        match measure(arena, fields[i].ty, depth) {
            Measure::Known(l) => {
                let a = max(l.align as int, 1);
                if up_fits(offset, a) && up(offset, a) + l.size <= u64::MAX {
                    measure_fields(
                        arena,
                        fields,
                        i + 1,
                        depth,
                        up(offset, a) + l.size,
                        max(align, l.align as int),
                    )
                } else {
                    Measure::TooBig
                }
            },
            m => m,
        }
    }
}

/// The layout of a union with `tag`, from variant `i` on.
pub open spec fn measure_variants(
    arena: TypeArena,
    variants: Seq<UnionVariant>,
    i: int,
    depth: int,
    area: Area,
    tag: Layout,
) -> Measure
    decreases 65 - depth, 1 + variants.len() - i,
{
    if i < 0 || i >= variants.len() {
        let align = max(tag.align as int, area.align);
        let off = up(tag.size as int, area.align);
        if up_fits(tag.size as int, area.align) && up_fits(off + area.size, align) {
            known(up(off + area.size, align), align)
        } else {
            Measure::TooBig
        }
    } else {
        match measure(arena, variants[i].payload, depth) {
            Measure::Known(l) => measure_variants(
                arena,
                variants,
                i + 1,
                depth,
                Area { size: max(area.size, l.size as int), align: max(
                    area.align,
                    l.align as int,
                ) },
                tag,
            ),
            m => m,
        }
    }
}

/// The layout of a type, where it has one.
pub open spec fn layout(arena: TypeArena, ty: TypeId) -> Option<Layout> {
    match measure(arena, ty, 0) {
        Measure::Known(l) => Some(l),
        _ => None,
    }
}

/// The layout of a type, a machine word standing in where it has none.
pub open spec fn layout_or_word(arena: TypeArena, ty: TypeId) -> Layout {
    match layout(arena, ty) {
        Some(l) => l,
        None => Layout::word(),
    }
}

/// Whether no type of the arena outgrows 64 bits.
pub open spec fn measurable(arena: TypeArena) -> bool {
    forall|ty: TypeId| #[trigger] arena.has(ty) ==> measure(arena, ty, 0) != Measure::TooBig
}

// ---------------------------------------------------------------------------
//  Arithmetic
// ---------------------------------------------------------------------------

/// Rounding up gives the least multiple that is not below.
pub proof fn up_facts(x: int, a: int)
    requires
        x >= 0,
        a >= 1,
    ensures
        x <= up(x, a) < x + a,
        up(x, a) % a == 0,
        x % a == 0 ==> up(x, a) == x,
{
    if a > 1 {
        crate::elf::rounded_facts(x, a);
    } else {
        assert(x % 1 == 0);
    }
}

/// Rounds `x` up to a multiple of `a`, a power of two.
pub fn round_up(x: u64, a: u64) -> (r: u64)
    requires
        a <= 1 || is_pow2(a as int),
        up_fits(x as int, a as int),
    ensures
        r == up(x as int, a as int),
{
    if a <= 1 {
        return x;
    }
    proof {
        up_facts(x as int, a as int);
    }
    (x + (a - 1)) / a * a
}

fn round_up_checked(x: u64, a: u64) -> (r: Option<u64>)
    ensures
        match r {
            Some(v) => up_fits(x as int, a as int) && v == up(x as int, a as int),
            None => !up_fits(x as int, a as int),
        },
{
    if a <= 1 {
        return Some(x);
    }
    if a - 1 > u64::MAX - x {
        return None;
    }
    proof {
        up_facts(x as int, a as int);
    }
    Some((x + (a - 1)) / a * a)
}

fn max64(a: u64, b: u64) -> (r: u64)
    ensures
        r == max(a as int, b as int),
{
    if a >= b {
        a
    } else {
        b
    }
}

fn next_pow2(n: u64) -> (r: u64)
    requires
        n <= 0x1_0000,
    ensures
        r == pow2_ceil(n as int),
        1 <= r <= 0x2_0000,
{
    let mut p: u64 = 1;
    while p < n
        invariant
            1 <= p <= 0x2_0000,
            n <= 0x1_0000,
            pow2_ceil(n as int) == pow2_from(p as int, n as int),
        decreases max(n - p, 0),
    {
        p = 2 * p;
    }
    p
}

/// The bytes of an integer type.
pub fn int_byte_size(bits: IntBits) -> (r: u64)
    ensures
        r == int_bytes(bits),
        r <= 0x2_0000,
{
    match bits {
        IntBits::Usize | IntBits::Isize => 8,
        IntBits::Fixed(n) => if n == 0 {
            0
        } else {
            next_pow2((n as u64 + 7) / 8)
        },
    }
}

fn enum_tag_bits(n: usize) -> (r: u16)
    ensures
        r == tag_bits(n as int),
        1 <= r <= 64,
{
    if n <= 2 {
        return 1;
    }
    let mut m: usize = n - 1;
    let mut bits: u16 = 0;
    let ghost mut left: int = 64;
    assert(m <= 0xFFFF_FFFF_FFFF_FFFF);
    proof {
        vstd::arithmetic::power2::lemma2_to64();
        vstd::arithmetic::power2::lemma2_to64_rest();
    }
    while m > 0
        invariant
            bit_len(n - 1) == bits + bit_len(m as int),
            left == 64 - bits,
            0 <= left <= 64,
            m < vstd::arithmetic::power2::pow2(left as nat),
            bits > 0 || m > 0,
        decreases m,
    {
        proof {
            if left == 0 {
                vstd::arithmetic::power2::lemma2_to64();
            }
            assert(left > 0);
            vstd::arithmetic::power2::lemma_pow2_unfold(left as nat);
            left = left - 1;
        }
        m = m / 2;
        bits = bits + 1;
    }
    bits
}

fn union_tag(tag: UnionTagKind, n: usize) -> (r: Layout)
    ensures
        r == tag_layout(tag, n as int),
        r.size <= 0x2_0000,
        r.align <= 0x2_0000,
{
    match tag {
        UnionTagKind::Untagged => Layout { size: 0, align: 1 },
        _ => {
            let sz: u64 = int_byte_size(IntBits::Fixed(enum_tag_bits(n)));
            Layout { size: sz, align: max64(sz, 1) }
        },
    }
}

fn optional_of(l: Layout) -> (r: Measure)
    ensures
        r == optional_layout(l),
{
    let align: u64 = max64(l.align, 1);
    if l.size == u64::MAX {
        return Measure::TooBig;
    }
    match round_up_checked(l.size + 1, align) {
        Some(size) => Measure::Known(Layout { size, align }),
        None => Measure::TooBig,
    }
}

fn error_union_of(l: Layout) -> (r: Measure)
    ensures
        r == error_union_layout(l),
{
    let align: u64 = max64(l.align, 2);
    let off: u64 = match round_up_checked(2, max64(l.align, 1)) {
        Some(o) => o,
        None => {
            return Measure::TooBig;
        },
    };
    if l.size > u64::MAX - off {
        return Measure::TooBig;
    }
    match round_up_checked(off + l.size, align) {
        Some(size) => Measure::Known(Layout { size, align }),
        None => Measure::TooBig,
    }
}

fn saturating_product(a: u64, b: u64) -> (r: u64)
    ensures
        r == (if a * b <= u64::MAX {
            a * b
        } else {
            u64::MAX as int
        }),
{
    proof {
        assert(a * b <= 0xFFFF_FFFF_FFFF_FFFF * 0xFFFF_FFFF_FFFF_FFFF) by (nonlinear_arith)
            requires
                a <= 0xFFFF_FFFF_FFFF_FFFF,
                b <= 0xFFFF_FFFF_FFFF_FFFF,
                0 <= a,
                0 <= b,
        ;
    }
    let p: u128 = (a as u128) * (b as u128);
    if p <= 0xFFFF_FFFF_FFFF_FFFF {
        p as u64
    } else {
        u64::MAX
    }
}

fn array_of(l: Layout, n: u64) -> (r: Measure)
    ensures
        r == array_layout(l, n as int),
{
    proof {
        assert(l.size * n >= 0) by (nonlinear_arith)
            requires
                l.size >= 0,
                n >= 0,
        ;
    }
    Measure::Known(Layout { size: saturating_product(l.size, n), align: max64(l.align, 1) })
}

fn vector_of(l: Layout, n: u32) -> (r: Measure)
    ensures
        r == vector_layout(l, n as int),
{
    proof {
        assert(l.size * n >= 0) by (nonlinear_arith)
            requires
                l.size >= 0,
                n >= 0,
        ;
    }
    let raw: u64 = saturating_product(l.size, n as u64);
    if raw > 0x8000_0000_0000_0000 {
        return Measure::TooBig;
    }
    let align: u64 = if raw > 8 {
        16
    } else {
        next_pow2(max64(raw, 1))
    };
    match round_up_checked(raw, align) {
        Some(size) => Measure::Known(Layout { size, align }),
        None => Measure::TooBig,
    }
}

// ---------------------------------------------------------------------------
//  Measuring
// ---------------------------------------------------------------------------

fn layout_depth(arena: &TypeArena, ty: TypeId, depth: u32) -> (r: Measure)
    requires
        arena.wf(),
        arena.has(ty),
        depth <= 65,
    ensures
        r == measure(*arena, ty, depth as int),
    decreases 65 - depth, 0int,
{
    if depth > 64 {
        return Measure::Unsized;
    }
    let t: Type = *arena.get(ty);
    assert(arena.type_ok(arena.types@[ty.0 as int]));
    match t {
        Type::Int { bits, .. } => {
            let size: u64 = int_byte_size(bits);
            Measure::Known(Layout { size, align: max64(size, 1) })
        },
        Type::Float { width } => {
            let size: u64 = next_pow2((width as u64 + 7) / 8);
            Measure::Known(Layout { size, align: size })
        },
        Type::Bool => Measure::Known(Layout { size: 1, align: 1 }),
        Type::Void | Type::NoReturn => Measure::Known(Layout { size: 0, align: 1 }),
        Type::Pointer { .. } | Type::Opaque(_) | Type::AnyOpaque => Measure::Known(
            Layout { size: 8, align: 8 },
        ),
        Type::Slice { .. } => Measure::Known(Layout { size: 16, align: 8 }),
        Type::Optional(inner) => match layout_depth(arena, inner, depth + 1) {
            Measure::Known(l) => match *arena.get(inner) {
                Type::Pointer { .. } => Measure::Known(l),
                _ => optional_of(l),
            },
            m => m,
        },
        Type::ErrorUnion { ok } => match layout_depth(arena, ok, depth + 1) {
            Measure::Known(l) => error_union_of(l),
            m => m,
        },
        Type::Array { len, elem } => match len {
            ArrayLen::Known(n) => match layout_depth(arena, elem, depth + 1) {
                Measure::Known(l) => array_of(l, n),
                m => m,
            },
            _ => Measure::Unsized,
        },
        Type::Vector { lanes, elem } => match layout_depth(arena, elem, depth + 1) {
            Measure::Known(l) => vector_of(l, lanes),
            m => m,
        },
        Type::Struct(id) => struct_depth(arena, id.0, depth + 1),
        Type::Enum(id) => {
            let tag = arena.enums[id.0 as usize].tag;
            layout_depth(arena, tag, depth + 1)
        },
        Type::Union(id) => union_depth(arena, id.0, depth + 1),
        _ => Measure::Unsized,
    }
}

fn struct_depth(arena: &TypeArena, id: u32, depth: u32) -> (r: Measure)
    requires
        arena.wf(),
        id < arena.structs@.len(),
        depth <= 65,
    ensures
        r == measure_fields(*arena, arena.structs@[id as int].fields@, 0, depth as int, 0, 1),
    decreases 65 - depth, 1int,
{
    let ghost fields = arena.structs@[id as int].fields@;
    let n: usize = arena.structs[id as usize].fields.len();
    let mut offset: u64 = 0;
    let mut align: u64 = 1;
    let mut i: usize = 0;
    while i < n
        invariant
            arena.wf(),
            id < arena.structs@.len(),
            depth <= 65,
            fields == arena.structs@[id as int].fields@,
            i <= n == fields.len(),
            measure_fields(*arena, fields, 0, depth as int, 0, 1) == measure_fields(
                *arena,
                fields,
                i as int,
                depth as int,
                offset as int,
                align as int,
            ),
        decreases n - i,
    {
        let fty: TypeId = arena.structs[id as usize].fields[i].ty;
        assert(arena.has(arena.structs@[id as int].fields@[i as int].ty));
        match layout_depth(arena, fty, depth) {
            Measure::Known(l) => {
                match round_up_checked(offset, max64(l.align, 1)) {
                    Some(o) => {
                        if l.size > u64::MAX - o {
                            return Measure::TooBig;
                        }
                        offset = o + l.size;
                        align = max64(align, l.align);
                    },
                    None => {
                        return Measure::TooBig;
                    },
                }
            },
            m => {
                return m;
            },
        }
        i = i + 1;
    }
    match round_up_checked(offset, align) {
        Some(size) => Measure::Known(Layout { size, align }),
        None => Measure::TooBig,
    }
}

fn union_depth(arena: &TypeArena, id: u32, depth: u32) -> (r: Measure)
    requires
        arena.wf(),
        id < arena.unions@.len(),
        depth <= 65,
    ensures
        ({
            let info = arena.unions@[id as int];
            r == measure_variants(
                *arena,
                info.variants@,
                0,
                depth as int,
                Area { size: 0, align: 1 },
                tag_layout(info.tag, info.variants@.len() as int),
            )
        }),
    decreases 65 - depth, 1int,
{
    let ghost variants = arena.unions@[id as int].variants@;
    let n: usize = arena.unions[id as usize].variants.len();
    let tag: Layout = union_tag(arena.unions[id as usize].tag, n);
    let mut size: u64 = 0;
    let mut align: u64 = 1;
    let mut i: usize = 0;
    while i < n
        invariant
            arena.wf(),
            id < arena.unions@.len(),
            depth <= 65,
            variants == arena.unions@[id as int].variants@,
            tag == tag_layout(arena.unions@[id as int].tag, variants.len() as int),
            i <= n == variants.len(),
            measure_variants(
                *arena,
                variants,
                0,
                depth as int,
                Area { size: 0, align: 1 },
                tag,
            ) == measure_variants(
                *arena,
                variants,
                i as int,
                depth as int,
                Area { size: size as int, align: align as int },
                tag,
            ),
        decreases n - i,
    {
        let pty: TypeId = arena.unions[id as usize].variants[i].payload;
        assert(arena.has(arena.unions@[id as int].variants@[i as int].payload));
        match layout_depth(arena, pty, depth) {
            Measure::Known(l) => {
                size = max64(size, l.size);
                align = max64(align, l.align);
            },
            m => {
                return m;
            },
        }
        i = i + 1;
    }
    let all: u64 = max64(tag.align, align);
    match round_up_checked(tag.size, align) {
        Some(off) => {
            if size > u64::MAX - off {
                return Measure::TooBig;
            }
            match round_up_checked(off + size, all) {
                Some(s) => Measure::Known(Layout { size: s, align: all }),
                None => Measure::TooBig,
            }
        },
        None => Measure::TooBig,
    }
}

/// Whether no type of the arena outgrows 64 bits.
pub fn all_measurable(arena: &TypeArena) -> (r: bool)
    requires
        arena.wf(),
    ensures
        r == measurable(*arena),
{
    let mut i: usize = 0;
    while i < arena.types.len()
        invariant
            arena.wf(),
            i <= arena.types@.len(),
            forall|ty: TypeId| ty.0 < i ==> measure(*arena, ty, 0) != Measure::TooBig,
        decreases arena.types@.len() - i,
    {
        let ty = TypeId(i as u32);
        match layout_depth(arena, ty, 0) {
            Measure::TooBig => {
                assert(arena.has(ty));
                return false;
            },
            _ => {},
        }
        assert forall|t: TypeId| t.0 < i + 1 implies measure(*arena, t, 0) != Measure::TooBig by {
            if t.0 == i {
                assert(t == ty);
            }
        }
        i = i + 1;
    }
    true
}

/// The layout of a type, where it has one.
pub fn layout_of(arena: &TypeArena, ty: TypeId) -> (r: Option<Layout>)
    requires
        arena.wf(),
        arena.has(ty),
        measure(*arena, ty, 0) != Measure::TooBig,
    ensures
        r == layout(*arena, ty),
{
    match layout_depth(arena, ty, 0) {
        Measure::Known(l) => Some(l),
        _ => None,
    }
}

/// The payload alignment of a union, variants without a layout passed over.
pub open spec fn payload_align(arena: TypeArena, variants: Seq<UnionVariant>) -> int
    decreases variants.len(),
{
    if variants.len() == 0 {
        1
    } else {
        let before = payload_align(arena, variants.drop_last());
        match layout(arena, variants.last().payload) {
            Some(l) => max(before, l.align as int),
            None => before,
        }
    }
}

/// The offset of a union's payload; 0 for any other type.
pub open spec fn union_payload(arena: TypeArena, ty: TypeId) -> int {
    match arena.at(ty) {
        Type::Union(id) => {
            let info = arena.unions@[id.0 as int];
            up(
                tag_layout(info.tag, info.variants@.len() as int).size as int,
                payload_align(arena, info.variants@),
            )
        },
        _ => 0,
    }
}

/// The offset of a union's payload; 0 for any other type.
pub fn union_payload_off(arena: &TypeArena, union_ty: TypeId) -> (r: u64)
    requires
        arena.wf(),
        arena.has(union_ty),
        measurable(*arena),
    ensures
        r == union_payload(*arena, union_ty),
{
    let id: u32 = match *arena.get(union_ty) {
        Type::Union(id) => id.0,
        _ => {
            return 0;
        },
    };
    assert(arena.type_ok(arena.types@[union_ty.0 as int]));
    let ghost variants = arena.unions@[id as int].variants@;
    let n: usize = arena.unions[id as usize].variants.len();
    let tag: Layout = union_tag(arena.unions[id as usize].tag, n);
    let mut align: u64 = 1;
    let mut i: usize = 0;
    assert(variants.take(0) =~= Seq::empty());
    while i < n
        invariant
            arena.wf(),
            measurable(*arena),
            id < arena.unions@.len(),
            variants == arena.unions@[id as int].variants@,
            i <= n == variants.len(),
            align == payload_align(*arena, variants.take(i as int)),
            1 <= align,
            align_small(align as int),
        decreases n - i,
    {
        let pty: TypeId = arena.unions[id as usize].variants[i].payload;
        assert(arena.has(arena.unions@[id as int].variants@[i as int].payload));
        proof {
            let t = variants.take(i + 1);
            assert(t.drop_last() =~= variants.take(i as int));
            assert(t.last() == variants[i as int]);
            alignment_facts(*arena, pty, 0);
        }
        match layout_of(arena, pty) {
            Some(l) => {
                align = max64(align, l.align);
            },
            None => {},
        }
        i = i + 1;
    }
    assert(variants.take(i as int) =~= variants);
    round_up(tag.size, align)
}

/// The tag of a union; empty for any other type.
pub fn union_tag_layout(arena: &TypeArena, union_ty: TypeId) -> (r: Layout)
    requires
        arena.wf(),
        arena.has(union_ty),
    ensures
        r == (match arena.at(union_ty) {
            Type::Union(id) => tag_layout(
                arena.unions@[id.0 as int].tag,
                arena.unions@[id.0 as int].variants@.len() as int,
            ),
            _ => Layout { size: 0, align: 1 },
        }),
{
    assert(arena.type_ok(arena.types@[union_ty.0 as int]));
    match *arena.get(union_ty) {
        Type::Union(id) => {
            let n: usize = arena.unions[id.0 as usize].variants.len();
            union_tag(arena.unions[id.0 as usize].tag, n)
        },
        _ => Layout { size: 0, align: 1 },
    }
}

/// Where the field behind `fields` would start, before its own alignment.
pub open spec fn fields_end(arena: TypeArena, fields: Seq<FieldInfo>) -> int
    decreases fields.len(),
{
    if fields.len() == 0 {
        0
    } else {
        let l = layout_or_word(arena, fields.last().ty);
        up(fields_end(arena, fields.drop_last()), max(l.align as int, 1)) + l.size
    }
}

/// The offset of each field.
pub open spec fn offsets_of(arena: TypeArena, fields: Seq<FieldInfo>) -> Seq<u64>
    decreases fields.len(),
{
    if fields.len() == 0 {
        Seq::empty()
    } else {
        let l = layout_or_word(arena, fields.last().ty);
        offsets_of(arena, fields.drop_last()).push(
            up(fields_end(arena, fields.drop_last()), max(l.align as int, 1)) as u64,
        )
    }
}

/// The fields of a struct type; none for any other type.
pub open spec fn fields_of(arena: TypeArena, ty: TypeId) -> Seq<FieldInfo> {
    match arena.at(ty) {
        Type::Struct(id) => arena.structs@[id.0 as int].fields@,
        _ => Seq::empty(),
    }
}

/// Whether the fields of a struct type end within 64 bits.
pub open spec fn offsets_fit(arena: TypeArena, ty: TypeId) -> bool {
    forall|n: int|
        0 <= n <= fields_of(arena, ty).len() ==> #[trigger] fields_end(
            arena,
            fields_of(arena, ty).take(n),
        ) <= MAX_END
}

/// The furthest end of a field.
pub const MAX_END: u64 = 0xFFFF_FFFF_FFF0_0000;

/// The offset of each field of a struct type; none for any other type.
pub fn field_offsets(arena: &TypeArena, struct_ty: TypeId) -> (r: Vec<u64>)
    requires
        arena.wf(),
        arena.has(struct_ty),
        measurable(*arena),
        offsets_fit(*arena, struct_ty),
    ensures
        r@ == offsets_of(*arena, fields_of(*arena, struct_ty)),
{
    let mut out: Vec<u64> = Vec::new();
    let id: u32 = match *arena.get(struct_ty) {
        Type::Struct(id) => id.0,
        _ => {
            assert(out@ =~= Seq::empty());
            return out;
        },
    };
    assert(arena.type_ok(arena.types@[struct_ty.0 as int]));
    let ghost fields = fields_of(*arena, struct_ty);
    let n: usize = arena.structs[id as usize].fields.len();
    let mut offset: u64 = 0;
    let mut i: usize = 0;
    assert(fields.take(0) =~= Seq::empty());
    assert(out@ =~= offsets_of(*arena, fields.take(0)));
    while i < n
        invariant
            arena.wf(),
            arena.has(struct_ty),
            measurable(*arena),
            offsets_fit(*arena, struct_ty),
            fields == fields_of(*arena, struct_ty),
            id < arena.structs@.len(),
            fields == arena.structs@[id as int].fields@,
            i <= n == fields.len(),
            offset == fields_end(*arena, fields.take(i as int)),
            offset <= MAX_END,
            out@ == offsets_of(*arena, fields.take(i as int)),
        decreases n - i,
    {
        let fty: TypeId = arena.structs[id as usize].fields[i].ty;
        assert(arena.has(arena.structs@[id as int].fields@[i as int].ty));
        let l: Layout = match layout_of(arena, fty) {
            Some(l) => l,
            None => Layout::WORD(),
        };
        proof {
            let t = fields.take(i + 1);
            assert(t.drop_last() =~= fields.take(i as int));
            assert(t.last() == fields[i as int]);
            alignment_facts(*arena, fty, 0);
            assert(fields_end(*arena, t) <= MAX_END);
            reveal_with_fuel(is_pow2, 5);
            up_facts(offset as int, max(l.align as int, 1));
        }
        let at: u64 = round_up(offset, max64(l.align, 1));
        out.push(at);
        offset = at + l.size;
        i = i + 1;
    }
    assert(fields.take(i as int) =~= fields);
    out
}

/// The element size of an array, slice or vector type, and the size of any other
/// type.
pub open spec fn stride(arena: TypeArena, ty: TypeId) -> u64 {
    let elem = match arena.at(ty) {
        Type::Array { elem, .. } => Some(elem),
        Type::Slice { elem } => Some(elem),
        Type::Vector { elem, .. } => Some(elem),
        _ => None,
    };
    match elem {
        Some(e) => match layout(arena, e) {
            Some(l) => l.size,
            None => 1,
        },
        None => match layout(arena, ty) {
            Some(l) => l.size,
            None => 8,
        },
    }
}

/// The element size of an array, slice or vector type, and the size of any other
/// type.
pub fn elem_size(arena: &TypeArena, container_ty: TypeId) -> (r: u64)
    requires
        arena.wf(),
        arena.has(container_ty),
        measurable(*arena),
    ensures
        r == stride(*arena, container_ty),
{
    assert(arena.type_ok(arena.types@[container_ty.0 as int]));
    let elem: Option<TypeId> = match *arena.get(container_ty) {
        Type::Array { elem, .. } => Some(elem),
        Type::Slice { elem } => Some(elem),
        Type::Vector { elem, .. } => Some(elem),
        _ => None,
    };
    match elem {
        Some(e) => match layout_of(arena, e) {
            Some(l) => l.size,
            None => 1,
        },
        None => match layout_of(arena, container_ty) {
            Some(l) => l.size,
            None => 8,
        },
    }
}

/// The offset of an error union's payload; 0 for any other type.
pub open spec fn error_payload(arena: TypeArena, ty: TypeId) -> int {
    match arena.at(ty) {
        Type::ErrorUnion { ok } => match layout(arena, ok) {
            Some(l) => up(2, max(l.align as int, 1)),
            None => 2,
        },
        _ => 0,
    }
}

/// The offset of an error union's payload; 0 for any other type.
pub fn error_union_payload_off(arena: &TypeArena, eu_ty: TypeId) -> (r: u64)
    requires
        arena.wf(),
        arena.has(eu_ty),
        measurable(*arena),
    ensures
        r == error_payload(*arena, eu_ty),
        r <= 0x10_0000,
{
    assert(arena.type_ok(arena.types@[eu_ty.0 as int]));
    match *arena.get(eu_ty) {
        Type::ErrorUnion { ok } => {
            proof {
                alignment_facts(*arena, ok, 0);
            }
            match layout_of(arena, ok) {
                Some(l) => {
                    proof {
                        up_facts(2, max(l.align as int, 1));
                    }
                    round_up(2, max64(l.align, 1))
                },
                None => 2,
            }
        },
        _ => 0,
    }
}

/// The offset of an optional's flag byte; none for a pointer, whose null says it.
pub open spec fn flag_off(arena: TypeArena, ty: TypeId) -> Option<u64> {
    match arena.at(ty) {
        Type::Optional(inner) => if arena.at(inner) is Pointer {
            None
        } else {
            match layout(arena, inner) {
                Some(l) => Some(l.size),
                None => None,
            }
        },
        _ => None,
    }
}

/// The offset of an optional's flag byte; none for a pointer, whose null says it.
pub fn optional_flag_off(arena: &TypeArena, opt_ty: TypeId) -> (r: Option<u64>)
    requires
        arena.wf(),
        arena.has(opt_ty),
        measurable(*arena),
    ensures
        r == flag_off(*arena, opt_ty),
{
    assert(arena.type_ok(arena.types@[opt_ty.0 as int]));
    match *arena.get(opt_ty) {
        Type::Optional(inner) => match *arena.get(inner) {
            Type::Pointer { .. } => None,
            _ => match layout_of(arena, inner) {
                Some(l) => Some(l.size),
                None => None,
            },
        },
        _ => None,
    }
}

// ---------------------------------------------------------------------------
//  Laws
// ---------------------------------------------------------------------------

/// An alignment: a power of two of no more than 17 bits.
pub open spec fn align_small(a: int) -> bool {
    is_pow2(a) && 1 <= a <= 0x2_0000
}

proof fn pow2_from_facts(p: int, n: int)
    requires
        is_pow2(p),
        1 <= p <= 0x2_0000,
        n <= 0x1_0000,
    ensures
        is_pow2(pow2_from(p, n)),
        1 <= pow2_from(p, n) <= 0x2_0000,
    decreases max(n - p, 0),
{
    if p < n {
        assert(is_pow2(2 * p));
        pow2_from_facts(2 * p, n);
    }
}

proof fn pow2_ceil_small(n: int)
    requires
        n <= 0x1_0000,
    ensures
        align_small(pow2_ceil(n)),
{
    pow2_from_facts(1, n);
}

proof fn int_bytes_small(bits: IntBits)
    ensures
        int_bytes(bits) == 0 || align_small(int_bytes(bits)),
{
    match bits {
        IntBits::Fixed(n) => {
            pow2_ceil_small((n + 7) / 8);
        },
        _ => {
            reveal_with_fuel(is_pow2, 5);
        },
    }
}

/// A size that is a multiple of the alignment, unless it is saturated.
pub open spec fn layout_ok(l: Layout) -> bool {
    align_small(l.align as int) && (l.size == u64::MAX || l.size % l.align == 0)
}

/// `measure` gives only alignments that are powers of two, and sizes that are
/// multiples of them; an array size that saturates is the one exception.
pub proof fn alignment_facts(arena: TypeArena, ty: TypeId, depth: int)
    ensures
        measure(arena, ty, depth) matches Measure::Known(l) ==> layout_ok(l),
    decreases 65 - depth, 0int,
{
    reveal_with_fuel(is_pow2, 6);
    if 0 <= depth <= 64 {
        match arena.at(ty) {
            Type::Int { bits, .. } => {
                int_bytes_small(bits);
                if int_bytes(bits) > 0 {
                    assert(int_bytes(bits) % int_bytes(bits) == 0) by (nonlinear_arith)
                        requires
                            int_bytes(bits) > 0,
                    ;
                }
            },
            Type::Float { width } => {
                pow2_ceil_small((width + 7) / 8);
                let s = pow2_ceil((width + 7) / 8);
                assert(s % s == 0) by (nonlinear_arith)
                    requires
                        s > 0,
                ;
            },
            Type::Optional(inner) => {
                alignment_facts(arena, inner, depth + 1);
                if let Measure::Known(l) = measure(arena, inner, depth + 1) {
                    up_facts(l.size + 1, max(l.align as int, 1));
                }
            },
            Type::ErrorUnion { ok } => {
                alignment_facts(arena, ok, depth + 1);
                if let Measure::Known(l) = measure(arena, ok, depth + 1) {
                    up_facts(2, max(l.align as int, 1));
                    up_facts(up(2, max(l.align as int, 1)) + l.size, max(l.align as int, 2));
                }
            },
            Type::Array { len, elem } => {
                alignment_facts(arena, elem, depth + 1);
                if let ArrayLen::Known(n) = len {
                    if let Measure::Known(l) = measure(arena, elem, depth + 1) {
                        array_aligned(l, n as int);
                    }
                }
            },
            Type::Vector { lanes, elem } => {
                alignment_facts(arena, elem, depth + 1);
                if let Measure::Known(l) = measure(arena, elem, depth + 1) {
                    assert(l.size * lanes >= 0) by (nonlinear_arith)
                        requires
                            l.size >= 0,
                            lanes >= 0,
                    ;
                    let raw = if l.size * lanes <= u64::MAX {
                        l.size * lanes
                    } else {
                        u64::MAX as int
                    };
                    if raw <= 8 {
                        pow2_ceil_small(max(raw, 1));
                        up_facts(raw, pow2_ceil(max(raw, 1)));
                    } else {
                        up_facts(raw, 16);
                    }
                }
            },
            Type::Struct(id) => fields_aligned(
                arena,
                arena.structs@[id.0 as int].fields@,
                0,
                depth + 1,
                0,
                1,
            ),
            Type::Enum(id) => alignment_facts(arena, arena.enums@[id.0 as int].tag, depth + 1),
            Type::Union(id) => {
                let info = arena.unions@[id.0 as int];
                int_bytes_small(IntBits::Fixed(tag_bits(info.variants@.len() as int) as u16));
                variants_aligned(
                    arena,
                    info.variants@,
                    0,
                    depth + 1,
                    Area { size: 0, align: 1 },
                    tag_layout(info.tag, info.variants@.len() as int),
                );
            },
            _ => {
                assert(0u64 % 1u64 == 0 && 1u64 % 1u64 == 0 && 8u64 % 8u64 == 0 && 16u64 % 8u64
                    == 0);
            },
        }
    }
}

proof fn array_aligned(l: Layout, n: int)
    requires
        layout_ok(l),
        0 <= n <= u64::MAX,
    ensures
        array_layout(l, n) matches Measure::Known(r) ==> layout_ok(r),
{
    assert(l.size * n >= 0) by (nonlinear_arith)
        requires
            l.size >= 0,
            n >= 0,
    ;
    if l.size == u64::MAX {
        if n == 0 {
            assert(l.size * n == 0) by (nonlinear_arith)
                requires
                    n == 0,
            ;
        } else {
            assert(l.size * n >= u64::MAX) by (nonlinear_arith)
                requires
                    l.size == u64::MAX,
                    n >= 1,
            ;
        }
    } else if l.size * n <= u64::MAX {
        let k = l.size as int / l.align as int;
        vstd::arithmetic::div_mod::lemma_fundamental_div_mod(l.size as int, l.align as int);
        assert(l.size * n == (k * n) * l.align) by (nonlinear_arith)
            requires
                l.size == l.align * k + 0,
        ;
        vstd::arithmetic::div_mod::lemma_mod_multiples_basic(k * n, l.align as int);
        assert((l.size * n) % (l.align as int) == 0);
    } else {
        assert(array_layout(l, n) == known(u64::MAX as int, max(l.align as int, 1)));
    }
}

proof fn fields_aligned(
    arena: TypeArena,
    fields: Seq<FieldInfo>,
    i: int,
    depth: int,
    offset: int,
    align: int,
)
    requires
        align_small(align),
        offset >= 0,
    ensures
        measure_fields(arena, fields, i, depth, offset, align) matches Measure::Known(l)
            ==> layout_ok(l),
    decreases 65 - depth, 1 + fields.len() - i,
{
    if i < 0 || i >= fields.len() {
        up_facts(offset, align);
    } else {
        alignment_facts(arena, fields[i].ty, depth);
        if let Measure::Known(l) = measure(arena, fields[i].ty, depth) {
            let a = max(l.align as int, 1);
            up_facts(offset, a);
            if up_fits(offset, a) && up(offset, a) + l.size <= u64::MAX {
                fields_aligned(
                    arena,
                    fields,
                    i + 1,
                    depth,
                    up(offset, a) + l.size,
                    max(align, l.align as int),
                );
            }
        }
    }
}

proof fn variants_aligned(
    arena: TypeArena,
    variants: Seq<UnionVariant>,
    i: int,
    depth: int,
    area: Area,
    tag: Layout,
)
    requires
        align_small(area.align),
        align_small(tag.align as int),
        area.size >= 0,
    ensures
        measure_variants(arena, variants, i, depth, area, tag) matches Measure::Known(l)
            ==> layout_ok(l),
    decreases 65 - depth, 1 + variants.len() - i,
{
    if i < 0 || i >= variants.len() {
        let align = max(tag.align as int, area.align);
        up_facts(tag.size as int, area.align);
        up_facts(up(tag.size as int, area.align) + area.size, align);
    } else {
        alignment_facts(arena, variants[i].payload, depth);
        if let Measure::Known(l) = measure(arena, variants[i].payload, depth) {
            variants_aligned(
                arena,
                variants,
                i + 1,
                depth,
                Area { size: max(area.size, l.size as int), align: max(
                    area.align,
                    l.align as int,
                ) },
                tag,
            );
        }
    }
}

/// Fields stand at multiples of their alignments, in order, without overlap.
pub proof fn fields_do_not_overlap(arena: TypeArena, fields: Seq<FieldInfo>, i: int, j: int)
    requires
        0 <= i <= j < fields.len(),
        fields_end(arena, fields) <= u64::MAX,
    ensures
        offsets_of(arena, fields).len() == fields.len(),
        offsets_of(arena, fields)[i] % layout_or_word(arena, fields[i].ty).align == 0,
        i < j ==> offsets_of(arena, fields)[i] + layout_or_word(arena, fields[i].ty).size
            <= offsets_of(arena, fields)[j],
        offsets_of(arena, fields)[j] + layout_or_word(arena, fields[j].ty).size <= fields_end(
            arena,
            fields,
        ),
    decreases fields.len(),
{
    let f0 = fields.drop_last();
    let l = layout_or_word(arena, fields.last().ty);
    alignment_facts(arena, fields.last().ty, 0);
    reveal_with_fuel(is_pow2, 5);
    fields_end_nonneg(arena, f0);
    up_facts(fields_end(arena, f0), max(l.align as int, 1));
    offsets_length(arena, f0);
    if j < f0.len() {
        fields_do_not_overlap(arena, f0, i, j);
        assert(f0[i] == fields[i] && f0[j] == fields[j]);
    } else if i < f0.len() {
        fields_do_not_overlap(arena, f0, i, i);
        assert(f0[i] == fields[i]);
    }
}

proof fn offsets_length(arena: TypeArena, fields: Seq<FieldInfo>)
    ensures
        offsets_of(arena, fields).len() == fields.len(),
    decreases fields.len(),
{
    if fields.len() > 0 {
        offsets_length(arena, fields.drop_last());
    }
}

proof fn fields_end_nonneg(arena: TypeArena, fields: Seq<FieldInfo>)
    ensures
        fields_end(arena, fields) >= 0,
    decreases fields.len(),
{
    if fields.len() > 0 {
        fields_end_nonneg(arena, fields.drop_last());
        let l = layout_or_word(arena, fields.last().ty);
        up_facts(fields_end(arena, fields.drop_last()), max(l.align as int, 1));
    }
}

} // verus!
