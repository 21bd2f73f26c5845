//! The types of a program, interned in an arena.
use vstd::prelude::*;

verus! {

/// A type, by its index in the arena.
#[derive(Clone, Copy, PartialEq, Eq, Structural, Debug)]
pub struct TypeId(pub u32);

/// A struct, by its index in the arena.
#[derive(Clone, Copy, PartialEq, Eq, Structural, Debug)]
pub struct StructId(pub u32);

/// An enum, by its index in the arena.
#[derive(Clone, Copy, PartialEq, Eq, Structural, Debug)]
pub struct EnumId(pub u32);

/// A union, by its index in the arena.
#[derive(Clone, Copy, PartialEq, Eq, Structural, Debug)]
pub struct UnionId(pub u32);

/// The width of an integer type.
#[derive(Clone, Copy, PartialEq, Eq, Structural, Debug)]
pub enum IntBits {
    /// A fixed number of bits.
    Fixed(u16),
    /// The unsigned machine word.
    Usize,
    /// The signed machine word.
    Isize,
}

/// The length of an array type.
#[derive(Clone, Copy, PartialEq, Eq, Structural, Debug)]
pub enum ArrayLen {
    /// A known length.
    Known(u64),
    /// A length that the literal gives.
    Inferred,
}

/// A type.
#[derive(Clone, Copy, PartialEq, Eq, Structural, Debug)]
pub enum Type {
    /// An integer.
    Int { signed: bool, bits: IntBits },
    /// A binary floating-point number of a width.
    Float { width: u16 },
    /// A truth value.
    Bool,
    /// Nothing.
    Void,
    /// The type of what does not return.
    NoReturn,
    /// A pointer.
    Pointer { pointee: TypeId },
    /// A capability handle.
    Opaque(u32),
    /// Any capability handle.
    AnyOpaque,
    /// A pointer and a length.
    Slice { elem: TypeId },
    /// A value or nothing.
    Optional(TypeId),
    /// A value or an error.
    ErrorUnion { ok: TypeId },
    /// A set of errors.
    ErrorSet(u32),
    /// Any error.
    AnyError,
    /// An array.
    Array { len: ArrayLen, elem: TypeId },
    /// A vector of lanes.
    Vector { lanes: u32, elem: TypeId },
    /// A struct.
    Struct(StructId),
    /// An enum.
    Enum(EnumId),
    /// A union.
    Union(UnionId),
    /// An integer known while compiling.
    ComptimeInt,
    /// A float known while compiling.
    ComptimeFloat,
    /// Not known yet.
    Deferred,
    /// Any type.
    AnyType,
}

/// A field of a struct.
#[derive(Clone, Copy, PartialEq, Eq, Structural, Debug)]
pub struct FieldInfo {
    /// The field's type.
    pub ty: TypeId,
    /// The first bit, in a packed struct.
    pub bit_offset: Option<u32>,
    /// The number of bits, in a packed struct.
    pub bit_width: Option<u32>,
}

/// A struct.
#[derive(Debug)]
pub struct StructInfo {
    /// The fields in order.
    pub fields: Vec<FieldInfo>,
    /// Whether the fields are bits of one backing integer.
    pub packed: bool,
}

/// An enum.
#[derive(Clone, Copy, PartialEq, Eq, Structural, Debug)]
pub struct EnumInfo {
    /// The integer type of the tag.
    pub tag: TypeId,
}

/// How a union is tagged.
#[derive(Clone, Copy, PartialEq, Eq, Structural, Debug)]
pub enum UnionTagKind {
    /// Not at all.
    Untagged,
    /// By the index of the variant.
    Inferred,
    /// By an enum.
    Explicit(TypeId),
}

/// A variant of a union.
#[derive(Clone, Copy, PartialEq, Eq, Structural, Debug)]
pub struct UnionVariant {
    /// What the variant carries.
    pub payload: TypeId,
}

/// A union; `start` is the source position of its definition and tells two
/// unions apart.
#[derive(Debug)]
pub struct UnionInfo {
    /// Where the definition starts.
    pub start: u32,
    /// How it is tagged.
    pub tag: UnionTagKind,
    /// The variants in order.
    pub variants: Vec<UnionVariant>,
}

/// The types of a program.
pub struct TypeArena {
    /// The types by index.
    pub types: Vec<Type>,
    /// The structs by index.
    pub structs: Vec<StructInfo>,
    /// The enums by index.
    pub enums: Vec<EnumInfo>,
    /// The unions by index.
    pub unions: Vec<UnionInfo>,
}

/// The index of `void`.
pub const T_VOID: u32 = 0;

/// The index of `bool`.
pub const T_BOOL: u32 = 1;

/// The index of `u8`.
pub const T_U8: u32 = 2;

/// The index of the string type, a slice of bytes.
pub const T_STR: u32 = 3;

impl TypeArena {
    /// Whether `ty` is in the arena.
    pub open spec fn has(&self, ty: TypeId) -> bool {
        ty.0 < self.types@.len()
    }

    /// The type that `ty` names.
    pub open spec fn at(&self, ty: TypeId) -> Type {
        self.types@[ty.0 as int]
    }

    /// Whether everything that `t` refers to is in the arena.
    pub open spec fn type_ok(&self, t: Type) -> bool {
        match t {
            Type::Pointer { pointee } => self.has(pointee),
            Type::Slice { elem } => self.has(elem),
            Type::Optional(inner) => self.has(inner),
            Type::ErrorUnion { ok } => self.has(ok),
            Type::Array { elem, .. } => self.has(elem),
            Type::Vector { elem, .. } => self.has(elem),
            Type::Struct(id) => id.0 < self.structs@.len(),
            Type::Enum(id) => id.0 < self.enums@.len(),
            Type::Union(id) => id.0 < self.unions@.len(),
            _ => true,
        }
    }

    /// Whether every reference in the arena is to something in the arena, and
    /// the common types have their places.
    pub open spec fn wf(&self) -> bool {
        &&& 4 <= self.types@.len() <= u32::MAX
        &&& self.unions@.len() <= u32::MAX
        &&& self.types@[0] == Type::Void
        &&& self.types@[1] == Type::Bool
        &&& self.types@[2] == (Type::Int { signed: false, bits: IntBits::Fixed(8) })
        &&& self.types@[3] == (Type::Slice { elem: TypeId(2) })
        &&& forall|i: int| 0 <= i < self.types@.len() ==> self.type_ok(#[trigger] self.types@[i])
        &&& forall|i: int, k: int|
            0 <= i < self.structs@.len() && 0 <= k < self.structs@[i].fields@.len() ==> self.has(
                (#[trigger] self.structs@[i].fields@[k]).ty,
            )
        &&& forall|i: int| 0 <= i < self.enums@.len() ==> self.has((#[trigger] self.enums@[i]).tag)
        &&& forall|i: int, k: int|
            0 <= i < self.unions@.len() && 0 <= k < self.unions@[i].variants@.len() ==> self.has(
                (#[trigger] self.unions@[i].variants@[k]).payload,
            )
    }

    /// An arena of the common types.
    pub fn new() -> (r: TypeArena)
        ensures
            r.wf(),
            r.types@ == seq![
                Type::Void,
                Type::Bool,
                Type::Int { signed: false, bits: IntBits::Fixed(8) },
                Type::Slice { elem: TypeId(2) },
            ],
            r.structs@.len() == 0,
            r.enums@.len() == 0,
            r.unions@.len() == 0,
    {
        let mut types: Vec<Type> = Vec::new();
        types.push(Type::Void);
        types.push(Type::Bool);
        types.push(Type::Int { signed: false, bits: IntBits::Fixed(8) });
        types.push(Type::Slice { elem: TypeId(2) });
        let r = TypeArena {
            types,
            structs: Vec::new(),
            enums: Vec::new(),
            unions: Vec::new(),
        };
        assert(r.types@ =~= seq![
            Type::Void,
            Type::Bool,
            Type::Int { signed: false, bits: IntBits::Fixed(8) },
            Type::Slice { elem: TypeId(2) },
        ]);
        r
    }

    /// The type that `ty` names.
    pub fn get(&self, ty: TypeId) -> (r: &Type)
        requires
            self.has(ty),
        ensures
            *r == self.at(ty),
    {
        &self.types[ty.0 as usize]
    }

    /// The type `void`.
    pub fn t_void(&self) -> (r: TypeId)
        ensures
            r == TypeId(T_VOID),
    {
        TypeId(T_VOID)
    }

    /// The type `bool`.
    pub fn t_bool(&self) -> (r: TypeId)
        ensures
            r == TypeId(T_BOOL),
    {
        TypeId(T_BOOL)
    }

    /// The type `u8`.
    pub fn t_u8(&self) -> (r: TypeId)
        ensures
            r == TypeId(T_U8),
    {
        TypeId(T_U8)
    }

    /// The string type.
    pub fn t_str(&self) -> (r: TypeId)
        ensures
            r == TypeId(T_STR),
    {
        TypeId(T_STR)
    }

    /// The first place of `t`, where it is in the arena.
    pub open spec fn place_of(types: Seq<Type>, t: Type, from: int) -> Option<int>
        decreases types.len() - from,
    {
        if from < 0 || from >= types.len() {
            None
        } else if types[from] == t {
            Some(from)
        } else {
            Self::place_of(types, t, from + 1)
        }
    }

    /// The type `t`, added where it is not in the arena yet.
    pub fn intern(&mut self, t: Type) -> (r: TypeId)
        requires
            old(self).wf(),
            old(self).type_ok(t),
            old(self).types@.len() < u32::MAX,
        ensures
            final(self).wf(),
            final(self).at(r) == t,
            final(self).has(r),
            match TypeArena::place_of(old(self).types@, t, 0) {
                Some(i) => r.0 == i && final(self).types@ == old(self).types@,
                None => r.0 == old(self).types@.len() && final(self).types@
                    == old(self).types@.push(t),
            },
            final(self).structs == old(self).structs,
            final(self).enums == old(self).enums,
            final(self).unions == old(self).unions,
    {
        let mut i: usize = 0;
        while i < self.types.len()
            invariant
                i <= self.types@.len(),
                self.types@.len() < u32::MAX,
                *self == *old(self),
                self.wf(),
                TypeArena::place_of(self.types@, t, 0) == TypeArena::place_of(
                    self.types@,
                    t,
                    i as int,
                ),
            decreases self.types@.len() - i,
        {
            if self.types[i] == t {
                return TypeId(i as u32);
            }
            i = i + 1;
        }
        self.types.push(t);
        proof {
            assert forall|k: int| 0 <= k < self.types@.len() implies self.type_ok(
                #[trigger] self.types@[k],
            ) by {
                if k < old(self).types@.len() {
                    assert(old(self).type_ok(old(self).types@[k]));
                } else {
                    assert(old(self).type_ok(t));
                }
            }
            assert forall|j: int, k: int|
                0 <= j < self.structs@.len() && 0 <= k < self.structs@[j].fields@.len() implies self.has(
                (#[trigger] self.structs@[j].fields@[k]).ty) by {
                assert(old(self).has(old(self).structs@[j].fields@[k].ty));
            }
            assert forall|j: int, k: int|
                0 <= j < self.unions@.len() && 0 <= k < self.unions@[j].variants@.len() implies self.has(
                (#[trigger] self.unions@[j].variants@[k]).payload) by {
                assert(old(self).has(old(self).unions@[j].variants@[k].payload));
            }
            assert forall|j: int| 0 <= j < self.enums@.len() implies self.has(
                (#[trigger] self.enums@[j]).tag) by {
                assert(old(self).has(old(self).enums@[j].tag));
            }
        }
        TypeId((self.types.len() - 1) as u32)
    }

    /// The place of the union that is defined at `start`.
    pub open spec fn union_at(unions: Seq<UnionInfo>, start: u32, from: int) -> Option<int>
        decreases unions.len() - from,
    {
        if from < 0 || from >= unions.len() {
            None
        } else if unions[from].start == start {
            Some(from)
        } else {
            Self::union_at(unions, start, from + 1)
        }
    }

    /// The type of a union, which is added where none with its definition is in
    /// the arena yet.
    pub fn intern_union(&mut self, info: UnionInfo) -> (r: TypeId)
        requires
            old(self).wf(),
            old(self).types@.len() < u32::MAX,
            old(self).unions@.len() < u32::MAX,
            forall|k: int|
                0 <= k < info.variants@.len() ==> old(self).has(
                    (#[trigger] info.variants@[k]).payload,
                ),
        ensures
            final(self).wf(),
            final(self).has(r),
            match TypeArena::union_at(old(self).unions@, info.start, 0) {
                Some(i) => final(self).at(r) == Type::Union(UnionId(i as u32))
                    && final(self).unions@ == old(self).unions@,
                None => final(self).at(r) == Type::Union(UnionId(old(self).unions@.len() as u32))
                    && final(self).unions@ == old(self).unions@.push(info),
            },
            final(self).types@.len() >= old(self).types@.len(),
            forall|k: int|
                0 <= k < old(self).types@.len() ==> (#[trigger] final(self).types@[k])
                    == old(self).types@[k],
            final(self).structs == old(self).structs,
            final(self).enums == old(self).enums,
    {
        let mut i: usize = 0;
        while i < self.unions.len()
            invariant
                i <= self.unions@.len(),
                self.unions@.len() < u32::MAX,
                self.types@.len() < u32::MAX,
                *self == *old(self),
                self.wf(),
                TypeArena::union_at(self.unions@, info.start, 0) == TypeArena::union_at(
                    self.unions@,
                    info.start,
                    i as int,
                ),
            decreases self.unions@.len() - i,
        {
            if self.unions[i].start == info.start {
                return self.intern(Type::Union(UnionId(i as u32)));
            }
            i = i + 1;
        }
        let id: u32 = self.unions.len() as u32;
        self.unions.push(info);
        proof {
            assert forall|k: int| 0 <= k < self.types@.len() implies self.type_ok(
                #[trigger] self.types@[k],
            ) by {
                assert(old(self).type_ok(old(self).types@[k]));
            }
            assert forall|j: int, k: int|
                0 <= j < self.structs@.len() && 0 <= k < self.structs@[j].fields@.len() implies self.has(
                (#[trigger] self.structs@[j].fields@[k]).ty) by {
                assert(old(self).has(old(self).structs@[j].fields@[k].ty));
            }
            assert forall|j: int, k: int|
                0 <= j < self.unions@.len() && 0 <= k < self.unions@[j].variants@.len() implies self.has(
                (#[trigger] self.unions@[j].variants@[k]).payload) by {
                if j < old(self).unions@.len() {
                    assert(old(self).has(old(self).unions@[j].variants@[k].payload));
                } else {
                    assert(old(self).has(info.variants@[k].payload));
                }
            }
            assert forall|j: int| 0 <= j < self.enums@.len() implies self.has(
                (#[trigger] self.enums@[j]).tag) by {
                assert(old(self).has(old(self).enums@[j].tag));
            }
        }
        self.intern(Type::Union(UnionId(id)))
    }
}

} // verus!
