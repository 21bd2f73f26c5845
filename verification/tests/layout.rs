use k2_codegen::layout::{
    all_measurable, elem_size, error_union_payload_off, field_offsets, int_byte_size, layout_of,
    optional_flag_off, round_up, union_payload_off, union_tag_layout, Layout,
};
use k2_codegen::types::{
    ArrayLen, EnumId, EnumInfo, FieldInfo, IntBits, StructId, StructInfo, Type, TypeArena, TypeId,
    UnionInfo, UnionTagKind, UnionVariant,
};

fn union_of(arena: &mut TypeArena, start: u32, payloads: &[TypeId]) -> TypeId {
    let variants = payloads
        .iter()
        .map(|&p| UnionVariant { payload: p })
        .collect();
    arena.intern_union(UnionInfo {
        start,
        tag: UnionTagKind::Inferred,
        variants,
    })
}

fn u(arena: &mut TypeArena, bits: u16) -> TypeId {
    arena.intern(Type::Int {
        signed: false,
        bits: IntBits::Fixed(bits),
    })
}

fn struct_of(arena: &mut TypeArena, fields: &[TypeId]) -> TypeId {
    let id = StructId(arena.structs.len() as u32);
    arena.structs.push(StructInfo {
        fields: fields
            .iter()
            .map(|&ty| FieldInfo {
                ty,
                bit_offset: None,
                bit_width: None,
            })
            .collect(),
        packed: false,
    });
    arena.intern(Type::Struct(id))
}

#[test]
fn union_layout_is_tag_plus_max_payload() {
    let mut arena = TypeArena::new();
    let (u8t, u32t) = (u(&mut arena, 8), u(&mut arena, 32));
    let un = union_of(&mut arena, 100, &[u8t, u32t]);
    assert_eq!(layout_of(&arena, un), Some(Layout { size: 8, align: 4 }));
    assert_eq!(union_payload_off(&arena, un), 4);
    assert_eq!(union_tag_layout(&arena, un).size, 1);
}

#[test]
fn union_layout_aligns_payload_to_widest_variant() {
    let mut arena = TypeArena::new();
    let boolt = arena.intern(Type::Bool);
    let u64t = u(&mut arena, 64);
    let voidt = arena.t_void();
    let un = union_of(&mut arena, 200, &[boolt, u64t, voidt]);
    assert_eq!(layout_of(&arena, un), Some(Layout { size: 16, align: 8 }));
    assert_eq!(union_payload_off(&arena, un), 8);
    assert_eq!(union_tag_layout(&arena, un).size, 1);
}

#[test]
fn union_payload_off_is_zero_for_a_non_union() {
    let mut arena = TypeArena::new();
    let u32t = u(&mut arena, 32);
    assert_eq!(union_payload_off(&arena, u32t), 0);
}

#[test]
fn unions_with_one_definition_are_one() {
    let mut arena = TypeArena::new();
    let u8t = u(&mut arena, 8);
    let a = union_of(&mut arena, 7, &[u8t]);
    let b = union_of(&mut arena, 7, &[u8t]);
    let c = union_of(&mut arena, 8, &[u8t]);
    assert_eq!(a, b);
    assert_ne!(a, c);
    assert_eq!(arena.unions.len(), 2);
}

#[test]
fn integers_take_whole_bytes_up_to_a_power_of_two() {
    assert_eq!(int_byte_size(IntBits::Fixed(0)), 0);
    assert_eq!(int_byte_size(IntBits::Fixed(1)), 1);
    assert_eq!(int_byte_size(IntBits::Fixed(9)), 2);
    assert_eq!(int_byte_size(IntBits::Fixed(17)), 4);
    assert_eq!(int_byte_size(IntBits::Fixed(33)), 8);
    assert_eq!(int_byte_size(IntBits::Fixed(128)), 16);
    assert_eq!(int_byte_size(IntBits::Usize), 8);
    assert_eq!(int_byte_size(IntBits::Isize), 8);
}

#[test]
fn rounding_up() {
    assert_eq!(round_up(13, 8), 16);
    assert_eq!(round_up(16, 8), 16);
    assert_eq!(round_up(13, 1), 13);
    assert_eq!(round_up(13, 0), 13);
}

#[test]
fn optional_and_error_union() {
    let mut arena = TypeArena::new();
    let u32t = u(&mut arena, 32);
    let ptr = arena.intern(Type::Pointer { pointee: u32t });
    let opt = arena.intern(Type::Optional(u32t));
    let opt_ptr = arena.intern(Type::Optional(ptr));
    let eu = arena.intern(Type::ErrorUnion { ok: u32t });
    let eu_void = arena.intern(Type::ErrorUnion { ok: TypeId(0) });
    assert_eq!(layout_of(&arena, opt), Some(Layout { size: 8, align: 4 }));
    assert_eq!(optional_flag_off(&arena, opt), Some(4));
    assert_eq!(layout_of(&arena, opt_ptr), Some(Layout { size: 8, align: 8 }));
    assert_eq!(optional_flag_off(&arena, opt_ptr), None);
    assert_eq!(layout_of(&arena, eu), Some(Layout { size: 8, align: 4 }));
    assert_eq!(error_union_payload_off(&arena, eu), 4);
    assert_eq!(layout_of(&arena, eu_void), Some(Layout { size: 2, align: 2 }));
    assert_eq!(error_union_payload_off(&arena, eu_void), 2);
    assert_eq!(error_union_payload_off(&arena, u32t), 0);
}

#[test]
fn struct_fields_in_order() {
    let mut arena = TypeArena::new();
    let (u8t, u16t, u64t) = (u(&mut arena, 8), u(&mut arena, 16), u(&mut arena, 64));
    let s = struct_of(&mut arena, &[u8t, u64t, u16t]);
    assert_eq!(field_offsets(&arena, s), vec![0, 8, 16]);
    assert_eq!(layout_of(&arena, s), Some(Layout { size: 24, align: 8 }));
    assert_eq!(field_offsets(&arena, u8t), Vec::<u64>::new());
}

#[test]
fn arrays_vectors_and_slices() {
    let mut arena = TypeArena::new();
    let u32t = u(&mut arena, 32);
    let arr = arena.intern(Type::Array {
        len: ArrayLen::Known(3),
        elem: u32t,
    });
    let unsized_arr = arena.intern(Type::Array {
        len: ArrayLen::Inferred,
        elem: u32t,
    });
    let vec3 = arena.intern(Type::Vector {
        lanes: 3,
        elem: u32t,
    });
    let bools = arena.intern(Type::Vector {
        lanes: 4,
        elem: TypeId(1),
    });
    let slice = arena.intern(Type::Slice { elem: u32t });
    assert_eq!(layout_of(&arena, arr), Some(Layout { size: 12, align: 4 }));
    assert_eq!(layout_of(&arena, unsized_arr), None);
    assert_eq!(layout_of(&arena, vec3), Some(Layout { size: 16, align: 16 }));
    assert_eq!(layout_of(&arena, bools), Some(Layout { size: 4, align: 4 }));
    assert_eq!(layout_of(&arena, slice), Some(Layout { size: 16, align: 8 }));
    assert_eq!(elem_size(&arena, arr), 4);
    assert_eq!(elem_size(&arena, slice), 4);
    assert_eq!(elem_size(&arena, bools), 1);
    assert_eq!(elem_size(&arena, u32t), 4);
}

#[test]
fn enums_have_the_layout_of_their_tag() {
    let mut arena = TypeArena::new();
    let u16t = u(&mut arena, 16);
    arena.enums.push(EnumInfo { tag: u16t });
    let e = arena.intern(Type::Enum(EnumId(0)));
    assert_eq!(layout_of(&arena, e), Some(Layout { size: 2, align: 2 }));
}

#[test]
fn a_type_that_holds_itself_has_no_layout() {
    let mut arena = TypeArena::new();
    let s = struct_of(&mut arena, &[]);
    arena.structs[0].fields.push(FieldInfo {
        ty: s,
        bit_offset: None,
        bit_width: None,
    });
    assert_eq!(layout_of(&arena, s), None);
}

#[test]
fn huge_arrays_saturate_and_huge_optionals_do_not_measure() {
    let mut arena = TypeArena::new();
    let u64t = u(&mut arena, 64);
    let arr = arena.intern(Type::Array {
        len: ArrayLen::Known(u64::MAX),
        elem: u64t,
    });
    assert_eq!(
        layout_of(&arena, arr),
        Some(Layout {
            size: u64::MAX,
            align: 8
        })
    );
    assert!(all_measurable(&arena));
    arena.intern(Type::Optional(arr));
    assert!(!all_measurable(&arena));
}

#[test]
fn word_stands_in() {
    assert_eq!(Layout::WORD(), Layout { size: 8, align: 8 });
}
