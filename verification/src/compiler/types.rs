//! Interned types and the builtin ones among them.
use vstd::prelude::*;

verus! {

/// A type that could not be resolved took part in a comparison or a check.
#[derive(Clone, Copy, Debug, PartialEq, Eq, Structural)]
pub struct InvalidTypeError;

#[derive(Clone, Copy, Debug, PartialEq, Eq, Hash, Structural)]
pub enum IntType {
    I8,
    U8,
    I16,
    U16,
    I32,
    U32,
    I64,
    U64,
    I128,
    U128,
}

#[derive(Clone, Copy, Debug, PartialEq, Eq, Hash, Structural)]
pub enum FloatType {
    F32,
    F64,
}

#[derive(Clone, Copy, Debug, PartialEq, Eq, Hash, Structural)]
pub enum Primitive {
    I8,
    U8,
    I16,
    U16,
    I32,
    U32,
    I64,
    U64,
    I128,
    U128,
    F32,
    F64,
    Type,
}

impl IntType {
    /// The smallest value of the type.
    pub open spec fn lowest(self) -> int {
        match self {
            IntType::I8 => -0x80,
            IntType::I16 => -0x8000,
            IntType::I32 => -0x8000_0000,
            IntType::I64 => -0x8000_0000_0000_0000,
            IntType::I128 => -0x8000_0000_0000_0000_0000_0000_0000_0000,
            _ => 0,
        }
    }

    /// The largest value of the type.
    pub open spec fn highest(self) -> int {
        match self {
            IntType::I8 => 0x7f,
            IntType::U8 => 0xff,
            IntType::I16 => 0x7fff,
            IntType::U16 => 0xffff,
            IntType::I32 => 0x7fff_ffff,
            IntType::U32 => 0xffff_ffff,
            IntType::I64 => 0x7fff_ffff_ffff_ffff,
            IntType::U64 => 0xffff_ffff_ffff_ffff,
            IntType::I128 => 0x7fff_ffff_ffff_ffff_ffff_ffff_ffff_ffff,
            IntType::U128 => 0xffff_ffff_ffff_ffff_ffff_ffff_ffff_ffff,
        }
    }

    pub fn is_signed(self) -> (signed: bool)
        ensures
            signed == (self.lowest() < 0),
    {
        match self {
            IntType::I8 | IntType::I16 | IntType::I32 | IntType::I64 | IntType::I128 => true,
            _ => false,
        }
    }

    /// The magnitude of the smallest value.
    pub fn min(self) -> (m: u128)
        ensures
            m == -self.lowest(),
    {
        match self {
            IntType::I8 => 0x80,
            IntType::I16 => 0x8000,
            IntType::I32 => 0x8000_0000,
            IntType::I64 => 0x8000_0000_0000_0000,
            IntType::I128 => 0x8000_0000_0000_0000_0000_0000_0000_0000,
            _ => 0,
        }
    }

    pub fn max(self) -> (m: u128)
        ensures
            m == self.highest(),
    {
        match self {
            IntType::I8 => 0x7f,
            IntType::U8 => 0xff,
            IntType::I16 => 0x7fff,
            IntType::U16 => 0xffff,
            IntType::I32 => 0x7fff_ffff,
            IntType::U32 => 0xffff_ffff,
            IntType::I64 => 0x7fff_ffff_ffff_ffff,
            IntType::U64 => 0xffff_ffff_ffff_ffff,
            IntType::I128 => 0x7fff_ffff_ffff_ffff_ffff_ffff_ffff_ffff,
            IntType::U128 => 0xffff_ffff_ffff_ffff_ffff_ffff_ffff_ffff,
        }
    }
}

/// The types known to the compiler itself, in the order in which they are interned.
#[derive(Clone, Copy, Debug, PartialEq, Eq, Structural)]
pub enum BuiltinType {
    Invalid,
    Unit,
    I8,
    U8,
    I16,
    U16,
    I32,
    U32,
    I64,
    U64,
    I128,
    U128,
    F32,
    F64,
    Type,
    Array,
    Pointer,
    Function,
}

impl BuiltinType {
    /// The number of builtin types besides `Invalid` and `Unit`.
    pub const COUNT: u32 = 16;

    /// All builtin types, in the order in which they are interned.
    pub const VARIANTS: [BuiltinType; 18] = [
        BuiltinType::Invalid,
        BuiltinType::Unit,
        BuiltinType::I8,
        BuiltinType::U8,
        BuiltinType::I16,
        BuiltinType::U16,
        BuiltinType::I32,
        BuiltinType::U32,
        BuiltinType::I64,
        BuiltinType::U64,
        BuiltinType::I128,
        BuiltinType::U128,
        BuiltinType::F32,
        BuiltinType::F64,
        BuiltinType::Type,
        BuiltinType::Array,
        BuiltinType::Pointer,
        BuiltinType::Function,
    ];

    /// The position of a builtin type in the order of interning.
    pub open spec fn spec_id(self) -> u32 {
        match self {
            BuiltinType::Invalid => 0,
            BuiltinType::Unit => 1,
            BuiltinType::I8 => 2,
            BuiltinType::U8 => 3,
            BuiltinType::I16 => 4,
            BuiltinType::U16 => 5,
            BuiltinType::I32 => 6,
            BuiltinType::U32 => 7,
            BuiltinType::I64 => 8,
            BuiltinType::U64 => 9,
            BuiltinType::I128 => 10,
            BuiltinType::U128 => 11,
            BuiltinType::F32 => 12,
            BuiltinType::F64 => 13,
            BuiltinType::Type => 14,
            BuiltinType::Array => 15,
            BuiltinType::Pointer => 16,
            BuiltinType::Function => 17,
        }
    }

    pub fn id(self) -> (id: u32)
        ensures
            id == self.spec_id(),
            id < Self::COUNT + 2,
    {
        match self {
            BuiltinType::Invalid => 0,
            BuiltinType::Unit => 1,
            BuiltinType::I8 => 2,
            BuiltinType::U8 => 3,
            BuiltinType::I16 => 4,
            BuiltinType::U16 => 5,
            BuiltinType::I32 => 6,
            BuiltinType::U32 => 7,
            BuiltinType::I64 => 8,
            BuiltinType::U64 => 9,
            BuiltinType::I128 => 10,
            BuiltinType::U128 => 11,
            BuiltinType::F32 => 12,
            BuiltinType::F64 => 13,
            BuiltinType::Type => 14,
            BuiltinType::Array => 15,
            BuiltinType::Pointer => 16,
            BuiltinType::Function => 17,
        }
    }

    /// The size in bytes where it does not depend on generic arguments.
    pub open spec fn spec_size(self) -> Option<u64> {
        match self {
            BuiltinType::Invalid | BuiltinType::Unit | BuiltinType::Type => Some(0),
            BuiltinType::I8 | BuiltinType::U8 => Some(1),
            BuiltinType::I16 | BuiltinType::U16 => Some(2),
            BuiltinType::I32 | BuiltinType::U32 | BuiltinType::F32 => Some(4),
            BuiltinType::I64 | BuiltinType::U64 | BuiltinType::F64 => Some(8),
            BuiltinType::I128 | BuiltinType::U128 => Some(16),
            BuiltinType::Array | BuiltinType::Pointer | BuiltinType::Function => None,
        }
    }

    pub fn size(self) -> (size: Option<u64>)
        ensures
            size == self.spec_size(),
    {
        match self {
            BuiltinType::Invalid | BuiltinType::Unit | BuiltinType::Type => Some(0),
            BuiltinType::I8 | BuiltinType::U8 => Some(1),
            BuiltinType::I16 | BuiltinType::U16 => Some(2),
            BuiltinType::I32 | BuiltinType::U32 | BuiltinType::F32 => Some(4),
            BuiltinType::I64 | BuiltinType::U64 | BuiltinType::F64 => Some(8),
            BuiltinType::I128 | BuiltinType::U128 => Some(16),
            BuiltinType::Array | BuiltinType::Pointer | BuiltinType::Function => None,
        }
    }

    /// The names of the generic parameters. None of them is bounded.
    pub open spec fn spec_generics(self) -> Seq<Seq<char>> {
        match self {
            BuiltinType::Array => seq!["element"@, "count"@],
            BuiltinType::Pointer => seq!["pointee"@],
            BuiltinType::Function => seq!["return_type"@, "args"@],
            _ => Seq::empty(),
        }
    }

    pub fn generics(self) -> (names: Vec<&'static str>)
        ensures
            names@.map_values(|name: &'static str| name@) == self.spec_generics(),
    {
        let names: Vec<&'static str> = match self {
            BuiltinType::Array => vec!["element", "count"],
            BuiltinType::Pointer => vec!["pointee"],
            BuiltinType::Function => vec!["return_type", "args"],
            _ => Vec::new(),
        };
        assert(names@.map_values(|name: &'static str| name@) =~= self.spec_generics());
        names
    }

    /// The name under which the type is shown.
    pub open spec fn spec_name(self) -> Seq<char> {
        match self {
            BuiltinType::Invalid => "invalid"@,
            BuiltinType::Unit => "()"@,
            BuiltinType::I8 => "i8"@,
            BuiltinType::U8 => "u8"@,
            BuiltinType::I16 => "i16"@,
            BuiltinType::U16 => "u16"@,
            BuiltinType::I32 => "i32"@,
            BuiltinType::U32 => "u32"@,
            BuiltinType::I64 => "i64"@,
            BuiltinType::U64 => "u64"@,
            BuiltinType::I128 => "i128"@,
            BuiltinType::U128 => "u128"@,
            BuiltinType::F32 => "f32"@,
            BuiltinType::F64 => "f64"@,
            BuiltinType::Type => "type"@,
            BuiltinType::Array => "Array"@,
            BuiltinType::Pointer => "Pointer"@,
            BuiltinType::Function => "Function"@,
        }
    }

    pub fn name(self) -> (name: &'static str)
        ensures
            name@ == self.spec_name(),
    {
        match self {
            BuiltinType::Invalid => "invalid",
            BuiltinType::Unit => "()",
            BuiltinType::I8 => "i8",
            BuiltinType::U8 => "u8",
            BuiltinType::I16 => "i16",
            BuiltinType::U16 => "u16",
            BuiltinType::I32 => "i32",
            BuiltinType::U32 => "u32",
            BuiltinType::I64 => "i64",
            BuiltinType::U64 => "u64",
            BuiltinType::I128 => "i128",
            BuiltinType::U128 => "u128",
            BuiltinType::F32 => "f32",
            BuiltinType::F64 => "f64",
            BuiltinType::Type => "type",
            BuiltinType::Array => "Array",
            BuiltinType::Pointer => "Pointer",
            BuiltinType::Function => "Function",
        }
    }

    /// The integer type among the builtin ones, if it is one.
    pub open spec fn spec_as_int(self) -> Option<IntType> {
        match self {
            BuiltinType::I8 => Some(IntType::I8),
            BuiltinType::U8 => Some(IntType::U8),
            BuiltinType::I16 => Some(IntType::I16),
            BuiltinType::U16 => Some(IntType::U16),
            BuiltinType::I32 => Some(IntType::I32),
            BuiltinType::U32 => Some(IntType::U32),
            BuiltinType::I64 => Some(IntType::I64),
            BuiltinType::U64 => Some(IntType::U64),
            BuiltinType::I128 => Some(IntType::I128),
            BuiltinType::U128 => Some(IntType::U128),
            _ => None,
        }
    }

    /// The float type among the builtin ones, if it is one.
    pub open spec fn spec_as_float(self) -> Option<FloatType> {
        match self {
            BuiltinType::F32 => Some(FloatType::F32),
            BuiltinType::F64 => Some(FloatType::F64),
            _ => None,
        }
    }

    /// The builtin type that a primitive of the source language names.
    pub open spec fn of_primitive(value: Primitive) -> BuiltinType {
        match value {
            Primitive::I8 => BuiltinType::I8,
            Primitive::U8 => BuiltinType::U8,
            Primitive::I16 => BuiltinType::I16,
            Primitive::U16 => BuiltinType::U16,
            Primitive::I32 => BuiltinType::I32,
            Primitive::U32 => BuiltinType::U32,
            Primitive::I64 => BuiltinType::I64,
            Primitive::U64 => BuiltinType::U64,
            Primitive::I128 => BuiltinType::I128,
            Primitive::U128 => BuiltinType::U128,
            Primitive::F32 => BuiltinType::F32,
            Primitive::F64 => BuiltinType::F64,
            Primitive::Type => BuiltinType::Type,
        }
    }
}

/// The builtin type at position `id` of the order of interning.
pub open spec fn builtin_at(id: u32) -> Option<BuiltinType> {
    if id == 0 {
        Some(BuiltinType::Invalid)
    } else if id == 1 {
        Some(BuiltinType::Unit)
    } else if id == 2 {
        Some(BuiltinType::I8)
    } else if id == 3 {
        Some(BuiltinType::U8)
    } else if id == 4 {
        Some(BuiltinType::I16)
    } else if id == 5 {
        Some(BuiltinType::U16)
    } else if id == 6 {
        Some(BuiltinType::I32)
    } else if id == 7 {
        Some(BuiltinType::U32)
    } else if id == 8 {
        Some(BuiltinType::I64)
    } else if id == 9 {
        Some(BuiltinType::U64)
    } else if id == 10 {
        Some(BuiltinType::I128)
    } else if id == 11 {
        Some(BuiltinType::U128)
    } else if id == 12 {
        Some(BuiltinType::F32)
    } else if id == 13 {
        Some(BuiltinType::F64)
    } else if id == 14 {
        Some(BuiltinType::Type)
    } else if id == 15 {
        Some(BuiltinType::Array)
    } else if id == 16 {
        Some(BuiltinType::Pointer)
    } else if id == 17 {
        Some(BuiltinType::Function)
    } else {
        None
    }
}

/// `builtin_at` and `spec_id` are inverse to each other.
pub proof fn builtin_ids_round_trip(b: BuiltinType, id: u32)
    ensures
        builtin_at(b.spec_id()) == Some(b),
        builtin_at(id) matches Some(c) ==> c.spec_id() == id,
        builtin_at(id) is Some <==> id < BuiltinType::COUNT + 2,
{
}

fn int_of_id(id: u32) -> (ty: Option<IntType>)
    ensures
        ty == (match builtin_at(id) {
            Some(b) => b.spec_as_int(),
            None => None,
        }),
{
    match id {
        2 => Some(IntType::I8),
        3 => Some(IntType::U8),
        4 => Some(IntType::I16),
        5 => Some(IntType::U16),
        6 => Some(IntType::I32),
        7 => Some(IntType::U32),
        8 => Some(IntType::I64),
        9 => Some(IntType::U64),
        10 => Some(IntType::I128),
        11 => Some(IntType::U128),
        _ => None,
    }
}

fn float_of_id(id: u32) -> (ty: Option<FloatType>)
    ensures
        ty == (match builtin_at(id) {
            Some(b) => b.spec_as_float(),
            None => None,
        }),
{
    match id {
        12 => Some(FloatType::F32),
        13 => Some(FloatType::F64),
        _ => None,
    }
}

fn id_of_primitive(value: Primitive) -> (id: u32)
    ensures
        id == BuiltinType::of_primitive(value).spec_id(),
{
    match value {
        Primitive::I8 => 2,
        Primitive::U8 => 3,
        Primitive::I16 => 4,
        Primitive::U16 => 5,
        Primitive::I32 => 6,
        Primitive::U32 => 7,
        Primitive::I64 => 8,
        Primitive::U64 => 9,
        Primitive::I128 => 10,
        Primitive::U128 => 11,
        Primitive::F32 => 12,
        Primitive::F64 => 13,
        Primitive::Type => 14,
    }
}

/// An interned type. The first ids belong to the builtin types without parameters.
#[derive(Clone, Copy, Debug, PartialEq, Eq, Hash, Structural)]
pub struct Type(pub u32);

/// A type constructor: builtin, or the definition of a struct or an enum.
#[derive(Clone, Copy, Debug, PartialEq, Eq, Hash, Structural)]
pub struct BaseType(pub u32);

impl Type {
    /// The interned form of a builtin type.
    pub fn builtin(b: BuiltinType) -> (ty: Type)
        ensures
            ty.0 == b.spec_id(),
    {
        Type(b.id())
    }

    pub open spec fn is_invalid(self) -> bool {
        self.0 == BuiltinType::Invalid.spec_id()
    }

    /// Compares two types. Nothing is known of an invalid type.
    pub fn is_same_as(self, other: Type) -> (same: Result<bool, InvalidTypeError>)
        ensures
            same is Err <==> self.is_invalid() || other.is_invalid(),
            same is Ok ==> same->Ok_0 == (self == other),
    {
        let invalid = Type::builtin(BuiltinType::Invalid);
        if self == invalid || other == invalid {
            Err(InvalidTypeError)
        } else {
            Ok(self == other)
        }
    }

    pub fn as_int(self) -> (ty: Option<IntType>)
        ensures
            ty == (match builtin_at(self.0) {
                Some(b) => b.spec_as_int(),
                None => None,
            }),
    {
        int_of_id(self.0)
    }

    pub fn is_int(self) -> (is: bool)
        ensures
            is == (builtin_at(self.0) matches Some(b) && b.spec_as_int() is Some),
    {
        self.as_int().is_some()
    }

    pub fn as_float(self) -> (ty: Option<FloatType>)
        ensures
            ty == (match builtin_at(self.0) {
                Some(b) => b.spec_as_float(),
                None => None,
            }),
    {
        float_of_id(self.0)
    }

    pub fn is_float(self) -> (is: bool)
        ensures
            is == (builtin_at(self.0) matches Some(b) && b.spec_as_float() is Some),
    {
        self.as_float().is_some()
    }

    pub fn from_primitive(value: Primitive) -> (ty: Type)
        ensures
            ty.0 == BuiltinType::of_primitive(value).spec_id(),
    {
        Type(id_of_primitive(value))
    }
}

impl BaseType {
    /// The type constructor of a builtin type.
    pub fn builtin(b: BuiltinType) -> (ty: BaseType)
        ensures
            ty.0 == b.spec_id(),
    {
        BaseType(b.id())
    }

    pub fn as_int(self) -> (ty: Option<IntType>)
        ensures
            ty == (match builtin_at(self.0) {
                Some(b) => b.spec_as_int(),
                None => None,
            }),
    {
        int_of_id(self.0)
    }

    pub fn is_int(self) -> (is: bool)
        ensures
            is == (builtin_at(self.0) matches Some(b) && b.spec_as_int() is Some),
    {
        self.as_int().is_some()
    }

    pub fn as_float(self) -> (ty: Option<FloatType>)
        ensures
            ty == (match builtin_at(self.0) {
                Some(b) => b.spec_as_float(),
                None => None,
            }),
    {
        float_of_id(self.0)
    }

    pub fn is_float(self) -> (is: bool)
        ensures
            is == (builtin_at(self.0) matches Some(b) && b.spec_as_float() is Some),
    {
        self.as_float().is_some()
    }

    pub fn from_primitive(value: Primitive) -> (ty: BaseType)
        ensures
            ty.0 == BuiltinType::of_primitive(value).spec_id(),
    {
        BaseType(id_of_primitive(value))
    }
}

/// An interned type taken apart.
#[derive(Clone, Copy, Debug, PartialEq, Eq)]
pub enum TypeFull<'a> {
    Instance(BaseType, &'a [Type]),
    FunctionItem { function: (u32, u32), generics: &'a [Type] },
    Tuple { members: &'a [Type], named_members: &'a [(String, Type)] },
    Generic(u8),
    Const(u64),
}

#[derive(Debug, PartialEq, Eq, Hash)]
pub struct FunctionType {
    pub params: Vec<Type>,
    pub return_type: Type,
}

impl FunctionType {
    /// Whether the first `n` parameter types of both functions agree and are valid.
    pub open spec fn params_agree(self, b: FunctionType, n: int) -> bool {
        forall|i: int|
            0 <= i < n ==> {
                &&& !(#[trigger] self.params@[i]).is_invalid()
                &&& self.params@[i] == b.params@[i]
            }
    }

    /// Where the parameter lists differ, the first difference decides: an
    /// invalid type there is an error, two valid types are not the same.
    pub open spec fn differs_at(self, b: FunctionType, i: int) -> bool {
        &&& 0 <= i < self.params@.len()
        &&& self.params_agree(b, i)
        &&& !self.params_agree(b, i + 1)
    }

    /// Compares parameter by parameter, then the return types. A different
    /// number of parameters is a difference even where types are invalid.
    pub fn is_same_as(&self, b: &Self) -> (same: Result<bool, InvalidTypeError>)
        ensures
            self.params@.len() != b.params@.len() ==> same == Ok::<bool, InvalidTypeError>(false),
            self.params@.len() == b.params@.len() ==> {
                &&& forall|i: int|
                    #![trigger self.differs_at(*b, i)]
                    self.differs_at(*b, i) ==> {
                        if self.params@[i].is_invalid() || b.params@[i].is_invalid() {
                            same is Err
                        } else {
                            same == Ok::<bool, InvalidTypeError>(false)
                        }
                    }
                &&& self.params_agree(*b, self.params@.len() as int) ==> {
                    if self.return_type.is_invalid() || b.return_type.is_invalid() {
                        same is Err
                    } else {
                        same == Ok::<bool, InvalidTypeError>(self.return_type == b.return_type)
                    }
                }
            },
    {
        if self.params.len() != b.params.len() {
            return Ok(false);
        }
        let mut i: usize = 0;
        while i < self.params.len()
            invariant
                i <= self.params.len(),
                self.params@.len() == b.params@.len(),
                self.params_agree(*b, i as int),
            decreases self.params.len() - i,
        {
            let same = self.params[i].is_same_as(b.params[i]);
            proof {
                if !(same matches Ok(true)) {
                    assert(self.differs_at(*b, i as int)) by {
                        assert(!self.params_agree(*b, i + 1)) by {
                            let p = self.params@[i as int];
                        }
                    }
                    assert forall|j: int| self.differs_at(*b, j) implies j == i by {
                        if j < i {
                            assert(self.params_agree(*b, j + 1));
                        } else if j > i {
                            assert(self.params_agree(*b, i + 1));
                        }
                    }
                }
            }
            match same {
                Err(e) => {
                    return Err(e);
                },
                Ok(false) => {
                    return Ok(false);
                },
                Ok(true) => {},
            }
            i += 1;
        }
        assert forall|j: int| !self.differs_at(*b, j) by {
            if 0 <= j < self.params@.len() {
                assert(self.params_agree(*b, j + 1));
            }
        }
        self.return_type.is_same_as(b.return_type)
    }
}

/// Every builtin type is listed once, at the position of its id.
pub proof fn variants_are_listed_by_id(t: BuiltinType)
    ensures
        BuiltinType::VARIANTS@.len() == BuiltinType::COUNT + 2,
        BuiltinType::VARIANTS@[t.spec_id() as int] == t,
        forall|i: int|
            0 <= i < BuiltinType::VARIANTS@.len() ==> (
            #[trigger] BuiltinType::VARIANTS@[i]).spec_id() == i,
{
}

/// How many values some bytes can have.
pub open spec fn values_of_bytes(size: nat) -> int
    decreases size,
{
    if size == 0 {
        1
    } else {
        0x100 * values_of_bytes((size - 1) as nat)
    }
}

/// The number that decimal digits stand for.
pub open spec fn decimal(digits: Seq<char>) -> int
    decreases digits.len(),
{
    if digits.len() == 0 {
        0
    } else {
        10 * decimal(digits.drop_last()) + (digits.last() as int - '0' as int)
    }
}

proof fn lemma_decimal(digits: Seq<char>)
    ensures
        digits.len() == 1 ==> decimal(digits) == digits[0] as int - '0' as int,
        digits.len() == 2 ==> decimal(digits) == 10 * (digits[0] as int - '0' as int) + (
        digits[1] as int - '0' as int),
        digits.len() == 3 ==> decimal(digits) == 100 * (digits[0] as int - '0' as int) + 10 * (
        digits[1] as int - '0' as int) + (digits[2] as int - '0' as int),
{
    reveal_with_fuel(decimal, 4);
}

/// Names, sizes and values of numbers fit each other: behind the first letter of its name
/// stands how many bits a type has, eight for each byte. The values of an integer are as many
/// as its bytes can have. They begin with zero where the name begins with `u`, and half of them
/// are negative where it begins with `i`.
#[verifier::spinoff_prover]
#[verifier::rlimit(50)]
pub proof fn names_tell_the_values(t: BuiltinType)
    requires
        t.spec_as_int() is Some || t.spec_as_float() is Some,
    ensures
        t.spec_size() is Some,
        decimal(t.spec_name().drop_first()) == 8 * t.spec_size()->Some_0,
        t.spec_as_float() is Some <==> t.spec_name()[0] == 'f',
        t.spec_as_int() matches Some(i) ==> {
            let count = values_of_bytes(t.spec_size()->Some_0 as nat);
            &&& i.highest() - i.lowest() + 1 == count
            &&& t.spec_name()[0] == 'u' ==> i.lowest() == 0
            &&& t.spec_name()[0] == 'i' ==> 2 * i.lowest() == -count
            &&& t.spec_name()[0] == 'i' || t.spec_name()[0] == 'u'
        },
{
    reveal_strlit("i8");
    reveal_strlit("u8");
    reveal_strlit("i16");
    reveal_strlit("u16");
    reveal_strlit("i32");
    reveal_strlit("u32");
    reveal_strlit("i64");
    reveal_strlit("u64");
    reveal_strlit("i128");
    reveal_strlit("u128");
    reveal_strlit("f32");
    reveal_strlit("f64");
    lemma_decimal(t.spec_name().drop_first());
    reveal_with_fuel(values_of_bytes, 17);
}

/// Different primitives of the source language are different builtin types. All but the type
/// of types are numbers.
pub proof fn primitives_are_told_apart(p: Primitive, q: Primitive)
    ensures
        BuiltinType::of_primitive(p) == BuiltinType::of_primitive(q) ==> p == q,
        p != Primitive::Type <==> BuiltinType::of_primitive(p).spec_as_int() is Some
            || BuiltinType::of_primitive(p).spec_as_float() is Some,
{
}

} // verus!
